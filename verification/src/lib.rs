//! Indexing and inspecting the content of a storage chain.
//!
//! A storage chain keeps data that extrinsics bring with them apart from the
//! blocks, under the Blake2b hash of the data. A block body is then kept as an
//! index, in which such an extrinsic stands as the hash of its data and what is
//! left of it, and the database counts how often each hash is referred to.
//!
//! A node that did not execute the blocks has to fill that index afterwards.
//! [`indexer`] is the task that does so: a [`sweep`] over the retained blocks
//! commits their indexes and leaves some references for later, and [`resolve`]
//! makes up for those, with data that [`peers`] have and that [`bitswap`]
//! fetches and verifies. [`ledger`] proves that no reference is lost on the way,
//! and [`course`] what the whole task does until it ends. [`sweep_laws`],
//! [`resolve_laws`] and [`bitswap_laws`] say what each step and each reply comes
//! to. The tasks do no input or output themselves: each says what it waits for,
//! and goes on with the answer.
//!
//! A database that such a node left behind can be looked into. [`inspect`] says
//! what is printed of it, and [`inspect_laws`] what that depends on.
//! [`integrity`] checks that all data that the indexes name is there;
//! [`soundness`] proves what a check that passes means, and [`integrity_laws`] what
//! its numbers and its words are.
//!
//! Below these stand the encodings: [`body_index`] and [`lookup`] for what the
//! database holds, over [`scale`]; [`content_id`] for how peers name content,
//! over [`varint`]; [`hashing`]; and [`text`] for what is printed and typed.

pub mod bitswap;
pub mod bitswap_laws;
pub mod body_index;
pub mod bytes;
pub mod content_id;
pub mod content_map;
pub mod course;
pub mod hashing;
pub mod indexed_transactions;
pub mod indexer;
pub mod inspect;
pub mod inspect_laws;
pub mod integrity;
pub mod integrity_laws;
pub mod ledger;
pub mod lookup;
pub mod peers;
pub mod references;
pub mod resolve;
pub mod resolve_laws;
pub mod scale;
pub mod soundness;
pub mod sweep;
pub mod sweep_laws;
pub mod text;
pub mod varint;
