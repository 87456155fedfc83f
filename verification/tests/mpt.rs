use vcbc::mpt::hash::{KeyUtils, PathUtils};
use vcbc::mpt::node::{CompactEncoding, MPTNode};
use vcbc::mpt::trie::MerklePatriciaTrie;

fn lookup<'a>(all: &'a [(String, Vec<u8>)], key: &str) -> Option<&'a Vec<u8>> {
    all.iter().find(|(k, _)| k == key).map(|(_, v)| v)
}

#[test]
fn test_string_to_nibbles() {
    let nibbles = KeyUtils::string_to_nibbles("a");
    // 'a' is 97 in ASCII, which is 01100001 in binary
    // High 4 bits: 0110 = 6, Low 4 bits: 0001 = 1
    assert_eq!(nibbles, vec![6, 1]);

    let nibbles = KeyUtils::string_to_nibbles("ab");
    // 'a' -> [6, 1], 'b' -> [6, 2]
    assert_eq!(nibbles, vec![6, 1, 6, 2]);
}

#[test]
fn test_nibbles_to_string() {
    let nibbles = vec![6, 1];
    let string = KeyUtils::nibbles_to_string(&nibbles);
    assert_eq!(string, "a");

    let nibbles = vec![6, 1, 6, 2];
    let string = KeyUtils::nibbles_to_string(&nibbles);
    assert_eq!(string, "ab");
}

#[test]
fn test_key_utils() {
    // Test roundtrip conversion
    let test_strings = vec!["", "a", "hello", "world", "🚀"];

    for original in test_strings {
        let nibbles = KeyUtils::string_to_nibbles(original);
        let reconstructed = KeyUtils::nibbles_to_string(&nibbles);
        assert_eq!(original, reconstructed);
    }
}

#[test]
fn test_common_prefix_length() {
    assert_eq!(PathUtils::common_prefix_length(&[1, 2, 3], &[1, 2, 3]), 3);
    assert_eq!(PathUtils::common_prefix_length(&[1, 2, 3], &[1, 2, 4]), 2);
    assert_eq!(PathUtils::common_prefix_length(&[1, 2, 3], &[4, 5, 6]), 0);
    assert_eq!(PathUtils::common_prefix_length(&[], &[1, 2, 3]), 0);
    assert_eq!(PathUtils::common_prefix_length(&[1, 2, 3], &[]), 0);
}

#[test]
fn test_split_at() {
    let path = &[1, 2, 3, 4, 5];

    let (left, right) = PathUtils::split_at(path, 0);
    assert_eq!(left, &[] as &[u8]);
    assert_eq!(right, &[1, 2, 3, 4, 5]);

    let (left, right) = PathUtils::split_at(path, 2);
    assert_eq!(left, &[1, 2]);
    assert_eq!(right, &[3, 4, 5]);

    let (left, right) = PathUtils::split_at(path, 5);
    assert_eq!(left, &[1, 2, 3, 4, 5]);
    assert_eq!(right, &[] as &[u8]);
}

#[test]
fn test_mpt_node_new_branch() {
    let branch = MPTNode::new_branch();
    match branch {
        MPTNode::Branch { children, value } => {
            assert!(children.iter().all(Option::is_none));
            assert!(value.is_none());
        }
        _ => panic!("Expected branch node"),
    }
}

#[test]
fn test_mpt_node_calculate_hash() {
    let node = MPTNode::Empty;
    let hash = node.calculate_hash();
    assert_eq!(hash.len(), 32); // SHA256 hash length
}

#[test]
fn test_mpt_node_is_empty() {
    assert!(MPTNode::Empty.is_empty());
    assert!(!MPTNode::new_branch().is_empty());
}

#[test]
fn test_mpt_node_get_branch_value() {
    let branch = MPTNode::new_branch();
    assert_eq!(branch.get_branch_value(), None);

    let leaf = MPTNode::Leaf {
        path: vec![1, 2, 3],
        value: vec![4, 5, 6],
    };
    assert_eq!(leaf.get_branch_value(), None);
}

#[test]
fn test_compact_encode_decode() {
    // Test even length path
    let path = vec![1, 2, 3, 4];
    let encoded = CompactEncoding::encode(&path, false);
    let (decoded_path, terminator) = CompactEncoding::decode(&encoded).unwrap();
    assert_eq!(decoded_path, path);
    assert!(!terminator);

    // Test odd length path
    let path = vec![1, 2, 3];
    let encoded = CompactEncoding::encode(&path, true);
    let (decoded_path, terminator) = CompactEncoding::decode(&encoded).unwrap();
    assert_eq!(decoded_path, path);
    assert!(terminator);

    // Test empty path
    let path = vec![];
    let encoded = CompactEncoding::encode(&path, false);
    let (decoded_path, terminator) = CompactEncoding::decode(&encoded).unwrap();
    assert_eq!(decoded_path, path);
    assert!(!terminator);
}

#[test]
fn test_compact_encoding() {
    // Test encoding/decoding roundtrip
    let test_cases = vec![
        (vec![], false),
        (vec![1], true),
        (vec![1, 2, 3, 4], false),
        (vec![1, 2, 3, 4, 5], true),
    ];

    for (path, terminator) in test_cases {
        let encoded = CompactEncoding::encode(&path, terminator);
        let (decoded_path, decoded_terminator) = CompactEncoding::decode(&encoded).unwrap();
        assert_eq!(decoded_path, path);
        assert_eq!(decoded_terminator, terminator);
    }
}

#[test]
fn test_empty_mpt() {
    let mpt = MerklePatriciaTrie::new();
    assert!(mpt.is_empty());
    assert_eq!(mpt.get("nonexistent"), None);
}

#[test]
fn test_single_insert_and_get() {
    let mut mpt = MerklePatriciaTrie::new();
    mpt.insert("key1", b"value1".to_vec()).unwrap();

    assert_eq!(mpt.get("key1"), Some(b"value1".to_vec()));
    assert_eq!(mpt.get("key2"), None);
    assert!(!mpt.is_empty());
}

#[test]
fn test_multiple_inserts() {
    let mut mpt = MerklePatriciaTrie::new();
    mpt.insert("key1", b"value1".to_vec()).unwrap();
    mpt.insert("key2", b"value2".to_vec()).unwrap();

    assert_eq!(mpt.get("key1"), Some(b"value1".to_vec()));
    assert_eq!(mpt.get("key2"), Some(b"value2".to_vec()));
}

#[test]
fn test_update_existing_key() {
    let mut mpt = MerklePatriciaTrie::new();
    mpt.insert("key1", b"value1".to_vec()).unwrap();
    mpt.insert("key1", b"updated".to_vec()).unwrap();

    assert_eq!(mpt.get("key1"), Some(b"updated".to_vec()));
}

#[test]
fn test_remove_existing_key() {
    let mut mpt = MerklePatriciaTrie::new();
    mpt.insert("key1", b"value1".to_vec()).unwrap();
    assert!(mpt.remove("key1").unwrap());

    assert_eq!(mpt.get("key1"), None);
}

#[test]
fn test_remove_nonexistent_key() {
    let mut mpt = MerklePatriciaTrie::new();
    assert!(!mpt.remove("nonexistent").unwrap());
}

#[test]
fn test_get_all_data() {
    let mut mpt = MerklePatriciaTrie::new();
    mpt.insert("key1", b"value1".to_vec()).unwrap();
    mpt.insert("key2", b"value2".to_vec()).unwrap();

    let all = mpt.get_all();
    assert_eq!(all.len(), 2);
    assert_eq!(lookup(&all, "key1"), Some(&b"value1".to_vec()));
    assert_eq!(lookup(&all, "key2"), Some(&b"value2".to_vec()));
}

#[test]
fn test_root_hash_changes_with_data() {
    let mut mpt = MerklePatriciaTrie::new();
    let empty_hash = mpt.root_hash();

    mpt.insert("key", b"value".to_vec()).unwrap();
    let filled_hash = mpt.root_hash();

    assert_ne!(empty_hash, filled_hash);
}

#[test]
fn test_root_hash_consistency() {
    let mut mpt1 = MerklePatriciaTrie::new();
    let mut mpt2 = MerklePatriciaTrie::new();

    mpt1.insert("key", b"value".to_vec()).unwrap();
    mpt2.insert("key", b"value".to_vec()).unwrap();

    assert_eq!(mpt1.root_hash(), mpt2.root_hash());
}

#[test]
fn test_hex_root_hash() {
    let mpt = MerklePatriciaTrie::new();
    let hex_hash = mpt.hex_root_hash();

    // Should be a valid hex string
    assert!(hex_hash.chars().all(|c| c.is_ascii_hexdigit()));
    assert_eq!(hex_hash.len(), 64); // 32 bytes * 2 hex chars per byte
}

#[test]
fn test_complex_key_prefixes() {
    let mut mpt = MerklePatriciaTrie::new();

    mpt.insert("prefix1", b"value1".to_vec()).unwrap();
    mpt.insert("prefix2", b"value2".to_vec()).unwrap();
    mpt.insert("prefix", b"value3".to_vec()).unwrap();

    assert_eq!(mpt.get("prefix1"), Some(b"value1".to_vec()));
    assert_eq!(mpt.get("prefix2"), Some(b"value2".to_vec()));
    assert_eq!(mpt.get("prefix"), Some(b"value3".to_vec()));
}

#[test]
fn test_empty_value_handling() {
    let mut mpt = MerklePatriciaTrie::new();
    mpt.insert("empty", Vec::new()).unwrap();

    assert_eq!(mpt.get("empty"), Some(Vec::new()));
}

#[test]
fn test_large_values() {
    let mut mpt = MerklePatriciaTrie::new();
    let large_value = vec![42; 10000]; // 10KB value
    mpt.insert("large", large_value.clone()).unwrap();

    assert_eq!(mpt.get("large"), Some(large_value));
}

#[test]
fn test_unicode_keys() {
    let mut mpt = MerklePatriciaTrie::new();
    mpt.insert("🚀", b"rocket".to_vec()).unwrap();
    mpt.insert("测试", b"test".to_vec()).unwrap();

    assert_eq!(mpt.get("🚀"), Some(b"rocket".to_vec()));
    assert_eq!(mpt.get("测试"), Some(b"test".to_vec()));
}

#[test]
fn test_insert_remove_insert_cycle() {
    let mut mpt = MerklePatriciaTrie::new();

    mpt.insert("key", b"value1".to_vec()).unwrap();
    assert_eq!(mpt.get("key"), Some(b"value1".to_vec()));

    mpt.remove("key").unwrap();
    assert_eq!(mpt.get("key"), None);

    mpt.insert("key", b"value2".to_vec()).unwrap();
    assert_eq!(mpt.get("key"), Some(b"value2".to_vec()));
}

#[test]
fn test_multiple_removals() {
    let mut mpt = MerklePatriciaTrie::new();

    mpt.insert("key1", b"value1".to_vec()).unwrap();
    mpt.insert("key2", b"value2".to_vec()).unwrap();
    mpt.insert("key3", b"value3".to_vec()).unwrap();

    assert!(mpt.remove("key2").unwrap());
    assert_eq!(mpt.get("key2"), None);
    assert_eq!(mpt.get("key1"), Some(b"value1".to_vec()));
    assert_eq!(mpt.get("key3"), Some(b"value3".to_vec()));
}

#[test]
fn test_root_hash_after_removals() {
    let mut mpt = MerklePatriciaTrie::new();
    let original_hash = mpt.root_hash();

    mpt.insert("key", b"value".to_vec()).unwrap();
    let after_insert = mpt.root_hash();
    assert_ne!(original_hash, after_insert);

    mpt.remove("key").unwrap();
    let after_remove = mpt.root_hash();
    assert_eq!(original_hash, after_remove);
}

#[test]
fn test_mpt_insert_and_get() {
    let mut mpt = MerklePatriciaTrie::new();
    mpt.insert("test_key", b"test_value".to_vec()).unwrap();
    assert_eq!(mpt.get("test_key"), Some(b"test_value".to_vec()));
}

#[test]
fn test_mpt_remove() {
    let mut mpt = MerklePatriciaTrie::new();
    mpt.insert("test_key", b"test_value".to_vec()).unwrap();
    assert!(mpt.remove("test_key").unwrap());
    assert_eq!(mpt.get("test_key"), None);
}

#[test]
fn test_mpt_generate_proof() {
    let mut mpt = MerklePatriciaTrie::new();
    mpt.insert("key1", b"value1".to_vec()).unwrap();

    let proof = mpt
        .generate_proof("key1", 1, "block_hash".to_string())
        .unwrap();
    assert_eq!(proof.key, "key1");
    assert_eq!(proof.value, b"value1");
    assert_eq!(proof.block_index, 1);
    assert_eq!(proof.block_hash, "block_hash");
    assert!(!proof.timestamp.is_empty());
}

#[test]
fn empty_trie_root_is_the_digest_of_the_word_empty() {
    let mpt = MerklePatriciaTrie::new();
    assert_eq!(
        mpt.hex_root_hash(),
        "2e1cfa82b035c26cbbbdae632cea070514eb8b773f616aaeaf668e2f0be8f10d"
    );
}

#[test]
fn node_hashes_are_digests_of_their_json_text() {
    let empty = MPTNode::Empty;
    let expected_empty: Vec<u8> = (0..32)
        .map(|i| {
            u8::from_str_radix(
                &"65b1cbba3b92c5b2597926a0d5dcf1fe03cdb5fa8f518dbfc1c66a523473bc7a"[2 * i..2 * i + 2],
                16,
            )
            .unwrap()
        })
        .collect();
    assert_eq!(empty.calculate_hash(), expected_empty);

    let leaf = MPTNode::Leaf { path: vec![1, 2], value: vec![3] };
    let expected_leaf: Vec<u8> = (0..32)
        .map(|i| {
            u8::from_str_radix(
                &"fa48c68bb6b174b6f619e033cea8d7bc8209235ccb37bbb0f05e7a95cb23fc02"[2 * i..2 * i + 2],
                16,
            )
            .unwrap()
        })
        .collect();
    assert_eq!(leaf.calculate_hash(), expected_leaf);
}

#[test]
fn inserting_then_removing_a_key_restores_the_empty_trie() {
    let empty = MerklePatriciaTrie::new();
    let mut mpt = MerklePatriciaTrie::new();
    mpt.insert("only", b"value".to_vec()).unwrap();
    assert!(!mpt.is_empty());
    assert_eq!(mpt.remove("only").unwrap(), true);
    assert!(mpt.is_empty());
    assert_eq!(mpt.get("only"), None);
    assert_eq!(mpt.root_hash(), empty.root_hash());
}

#[test]
fn keys_that_are_prefixes_of_each_other_keep_their_values() {
    // Longer keys after shorter ones.
    let mut mpt = MerklePatriciaTrie::new();
    mpt.insert("do", b"verb".to_vec()).unwrap();
    mpt.insert("dog", b"puppy".to_vec()).unwrap();
    mpt.insert("doge", b"coin".to_vec()).unwrap();
    assert_eq!(mpt.get("do"), Some(b"verb".to_vec()));
    assert_eq!(mpt.get("dog"), Some(b"puppy".to_vec()));
    assert_eq!(mpt.get("doge"), Some(b"coin".to_vec()));
    assert_eq!(mpt.get("d"), None);

    // Shorter keys after longer ones.
    let mut mpt = MerklePatriciaTrie::new();
    mpt.insert("horse", b"stallion".to_vec()).unwrap();
    mpt.insert("hors", b"short".to_vec()).unwrap();
    mpt.insert("h", b"letter".to_vec()).unwrap();
    assert_eq!(mpt.get("horse"), Some(b"stallion".to_vec()));
    assert_eq!(mpt.get("hors"), Some(b"short".to_vec()));
    assert_eq!(mpt.get("h"), Some(b"letter".to_vec()));
    assert_eq!(mpt.get("ho"), None);
}

#[test]
fn removing_one_key_keeps_the_others() {
    let mut mpt = MerklePatriciaTrie::new();
    mpt.insert("apple", b"1".to_vec()).unwrap();
    mpt.insert("apricot", b"2".to_vec()).unwrap();
    mpt.insert("banana", b"3".to_vec()).unwrap();
    assert_eq!(mpt.remove("apricot").unwrap(), true);
    assert_eq!(mpt.get("apricot"), None);
    assert_eq!(mpt.get("apple"), Some(b"1".to_vec()));
    assert_eq!(mpt.get("banana"), Some(b"3".to_vec()));
    assert_eq!(mpt.remove("cherry").unwrap(), false);
    assert_eq!(mpt.get_all().len(), 2);
}

#[test]
fn listing_comes_in_key_order_without_repeats() {
    let mut mpt = MerklePatriciaTrie::new();
    mpt.insert("cherry", b"c".to_vec()).unwrap();
    mpt.insert("apple", b"a".to_vec()).unwrap();
    mpt.insert("banana", b"b".to_vec()).unwrap();
    mpt.insert("apple", b"A".to_vec()).unwrap();
    let all = mpt.get_all();
    let keys: Vec<&str> = all.iter().map(|(k, _)| k.as_str()).collect();
    assert_eq!(keys, vec!["apple", "banana", "cherry"]);
    assert_eq!(lookup(&all, "apple"), Some(&b"A".to_vec()));
}

#[test]
fn cloned_trie_has_the_same_pairs_and_root() {
    let mut mpt = MerklePatriciaTrie::new();
    mpt.insert("k1", b"v1".to_vec()).unwrap();
    mpt.insert("k2", b"v2".to_vec()).unwrap();
    let copy = mpt.clone();
    assert_eq!(copy.root_hash(), mpt.root_hash());
    assert_eq!(copy.get_all(), mpt.get_all());
}

#[test]
fn loading_a_listing_gives_back_the_same_pairs() {
    let mut mpt = MerklePatriciaTrie::new();
    mpt.insert("user:1", b"alice".to_vec()).unwrap();
    mpt.insert("user:2", b"bob".to_vec()).unwrap();
    mpt.insert("user", b"root".to_vec()).unwrap();
    let listing = mpt.get_all();
    let loaded = MerklePatriciaTrie::from_pairs(&listing);
    assert_eq!(loaded.get_all(), listing);
    assert_eq!(loaded.get("user:2"), Some(b"bob".to_vec()));
}

#[test]
fn a_later_pair_for_a_key_replaces_an_earlier_one() {
    let pairs = vec![
        ("k".to_string(), b"first".to_vec()),
        ("other".to_string(), b"x".to_vec()),
        ("k".to_string(), b"second".to_vec()),
    ];
    let mpt = MerklePatriciaTrie::from_pairs(&pairs);
    assert_eq!(mpt.get("k"), Some(b"second".to_vec()));
    assert_eq!(mpt.get("other"), Some(b"x".to_vec()));
    assert_eq!(mpt.get_all().len(), 2);
    assert!(MerklePatriciaTrie::from_pairs(&[]).is_empty());
}

#[test]
fn inserting_and_removing_a_new_key_keeps_the_other_pairs() {
    let mut mpt = MerklePatriciaTrie::new();
    mpt.insert("alpha", b"1".to_vec()).unwrap();
    mpt.insert("beta", b"2".to_vec()).unwrap();
    let before = mpt.get_all();
    mpt.insert("gamma", b"3".to_vec()).unwrap();
    assert_eq!(mpt.remove("gamma").unwrap(), true);
    assert_eq!(mpt.get_all(), before);
}

#[test]
fn a_trie_emptied_by_removals_is_empty() {
    let mut mpt = MerklePatriciaTrie::new();
    mpt.insert("key1", b"1".to_vec()).unwrap();
    mpt.insert("key2", b"2".to_vec()).unwrap();
    assert!(!mpt.is_empty());
    assert!(mpt.remove("key1").unwrap());
    assert!(!mpt.is_empty());
    assert!(mpt.remove("key2").unwrap());
    assert!(mpt.is_empty());
    assert!(mpt.get_all().is_empty());
}
