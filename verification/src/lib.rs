pub mod keys;
pub mod timestamp;
pub mod trie;
