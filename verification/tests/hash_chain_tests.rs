use preflate_rs::bit_helper::DebugHash;
use preflate_rs::hash_chain::{append_hash, HashChain, SKIPPED_DEPTH};
use preflate_rs::preflate_hash_chain::{hash_mask_of, PreflateHashChainExt};
use preflate_rs::preflate_input::PreflateInput;

fn hash3(a: u8, b: u8, c: u8) -> u32 {
    (((a as u32) << 10) ^ ((b as u32) << 5) ^ (c as u32)) & 0x7fff
}

#[test]
fn rolling_hash_formula() {
    assert_eq!(append_hash(0, b'a', 5, 0x7fff), 0x61);
    assert_eq!(append_hash(0x61, b'b', 5, 0x7fff), (0x61 << 5) ^ 0x62);
    assert_eq!(append_hash(0x7fff, 0xff, 5, 0x7fff), 0x7fff & ((0x7fff << 5) ^ 0xff));
    assert_eq!(append_hash(0x1ff, 0x00, 3, 0x1ff), 0x1f8);
    // Three bytes push every older byte out of the hash.
    let mut h = 0x1234;
    for b in [b'x', b'y', b'z'] {
        h = append_hash(h, b, 5, 0x7fff);
    }
    assert_eq!(h, hash3(b'x', b'y', b'z'));
}

#[test]
fn hash_masks() {
    assert_eq!(hash_mask_of(9), 0x1ff);
    assert_eq!(hash_mask_of(12), 0xfff);
    assert_eq!(hash_mask_of(15), 0x7fff);
}

#[test]
fn update_hash_enters_every_position() {
    let data = b"abcabcabcd";
    let mut chain = PreflateHashChainExt::new(data, 15);
    assert_eq!(chain.input().pos(), 0);
    chain.update_hash(7);
    assert_eq!(chain.input().pos(), 7);
    // Each position is reached from the head of the chain of its hash.
    for p in 0..7u32 {
        let hash = hash3(data[p as usize], data[p as usize + 1], data[p as usize + 2]);
        let mut cursor = chain.chain.iterate_from_head(hash, 7, 7);
        let mut found = false;
        loop {
            if cursor.pos() == p + 1 {
                found = true;
            }
            if !cursor.next() {
                break;
            }
        }
        assert!(found, "position {} is not on its chain", p);
    }
    // The chain of "abc" holds 6, 3 and 0, the newest first.
    let hash = chain.cur_hash();
    assert_eq!(hash, hash3(b'b', b'c', b'd'));
    let abc = hash3(b'a', b'b', b'c');
    assert_eq!(chain.get_head(abc), 7);
    let mut cursor = chain.chain.iterate_from_head(abc, 7, 7);
    assert!(cursor.valid());
    assert_eq!(cursor.dist(), 1);
    assert_eq!(cursor.depth(), 3);
    assert!(cursor.next());
    assert_eq!(cursor.dist(), 4);
    assert_eq!(cursor.depth(), 2);
    assert!(cursor.next());
    assert_eq!(cursor.dist(), 7);
    assert_eq!(cursor.depth(), 1);
    assert!(!cursor.next());
    assert!(!cursor.valid());
    assert_eq!(cursor.dist(), 8);
}

#[test]
fn chain_walk_stops_at_the_largest_distance() {
    let data = b"abcabcabcd";
    let mut chain = PreflateHashChainExt::new(data, 15);
    chain.update_hash(7);
    let abc = hash3(b'a', b'b', b'c');
    let mut cursor = chain.chain.iterate_from_head(abc, 7, 4);
    assert_eq!(cursor.dist(), 1);
    assert!(cursor.next());
    assert_eq!(cursor.dist(), 4);
    assert!(!cursor.next());
    let cursor = chain.iterate_from_pos(3, 7, 3);
    assert!(!cursor.valid());
    assert_eq!(cursor.dist(), 4);
    let cursor = chain.iterate_from_pos(3, 7, 4);
    assert!(cursor.valid());
}

#[test]
fn positions_without_three_bytes_are_not_entered() {
    let data = b"abcd";
    let mut chain = PreflateHashChainExt::new(data, 15);
    chain.update_hash(4);
    assert_eq!(chain.input().pos(), 4);
    assert_eq!(chain.input().remaining(), 0);
    assert_eq!(chain.get_head(hash3(b'a', b'b', b'c')), 1);
    assert_eq!(chain.get_head(hash3(b'b', b'c', b'd')), 2);
    assert_eq!(chain.get_node_depth(1), 1);
    assert_eq!(chain.get_node_depth(3), 0);
    assert_eq!(chain.get_node_depth(4), 0);
}

#[test]
fn skip_hash_enters_the_first_position_only() {
    let data = b"abcabcabcabcd";
    let mut chain = PreflateHashChainExt::new(data, 15);
    chain.update_hash(3);
    chain.skip_hash(6);
    assert_eq!(chain.input().pos(), 9);
    let abc = hash3(b'a', b'b', b'c');
    // Position 3 was entered, position 6 was not.
    assert_eq!(chain.get_head(abc), 4);
    assert_eq!(chain.get_node_depth(4), 2);
    for entry in 5..10 {
        assert_eq!(chain.get_node_depth(entry), SKIPPED_DEPTH);
    }
    // The rolling hash is ready for the position after the skipped ones.
    assert_eq!(chain.cur_hash(), abc);
    chain.update_hash(1);
    assert_eq!(chain.get_head(abc), 10);
    assert_eq!(chain.get_node_depth(10), 3);
}

#[test]
fn hash_equality_ignores_bits_above_the_mask() {
    let chain = HashChain::new(5, 0x7fff, 10);
    assert!(chain.hash_equal(0x1234, 0x1234));
    assert!(chain.hash_equal(0x1234, 0x9234));
    assert!(!chain.hash_equal(0x1234, 0x1235));
}

#[test]
fn input_cursor() {
    let data = b"hello world";
    let mut input = PreflateInput::new(data);
    assert_eq!(input.pos(), 0);
    assert_eq!(input.size(), 11);
    assert_eq!(input.remaining(), 11);
    assert_eq!(input.cur_chars(0), b"hello world");
    input.advance(6);
    assert_eq!(input.pos(), 6);
    assert_eq!(input.remaining(), 5);
    assert_eq!(input.cur_char(0), b'w');
    assert_eq!(input.cur_char(-1), b' ');
    assert_eq!(input.cur_chars(-6), b"hello world");
    assert_eq!(input.cur_chars(2), b"rld");
    assert_eq!(input.cur_chars(5), b"");
    input.advance(5);
    assert_eq!(input.remaining(), 0);
}

#[test]
fn checksum_depends_on_order() {
    let mut a = DebugHash::new();
    a.update(1);
    a.update(2);
    assert_eq!(a.hash(), 15);
    let mut b = DebugHash::default();
    b.update_slice(&[2, 1]);
    assert_eq!(b.hash(), 27);
    let mut c = DebugHash::new();
    c.update_slice(&[1, 2]);
    assert_eq!(a, c);
    let mut d = DebugHash { hash: u64::MAX };
    d.update(14);
    assert_eq!(d.hash(), 1);

    let mut chain = HashChain::new(3, 0x1ff, 4);
    let mut empty = DebugHash::new();
    chain.checksum(&mut empty);
    assert_eq!(empty.hash(), 0);
    chain.update_running_hash(1);
    let mut rolled = DebugHash::new();
    chain.checksum(&mut rolled);
    assert_ne!(rolled.hash(), 0);
}
