//! bosync makes a git repository behave like a cloud drive: its files show up as placeholders, are
//! hydrated from git blobs on open, and are committed back on save.
//!
//! This crate holds the decisions; it performs no I/O. What alternates between deciding and
//! looking at a disk, a repository or a remote is written as a value that asks one question at a
//! time and is resumed with the answer: [`sync`] (is the version I hold current?), [`reconcile`]
//! (what does a local change come to?), [`walk`] (every file of a tree), [`sweep`] (everything
//! below a folder), [`copy`] (what another object store lacks), [`push`] and [`fetch`]. Their
//! contracts say to what every such exchange leads, for every repository that might answer. What
//! can be decided at once comes as a plan: [`commit`], [`materialize`], [`proxy`], [`cloud`],
//! [`fuse`], [`schedule`] and [`driver`]. That walks, listings and paths agree is shown in
//! [`lookup`].
//!
//! The outside calls that the decisions rely on stand in [`trusted`].
pub mod cloud;
pub mod commit;
pub mod copy;
pub mod driver;
pub mod fetch;
pub mod fuse;
pub mod listing;
pub mod lookup;
pub mod materialize;
pub mod mount;
pub mod objects;
pub mod paths;
pub mod protocol;
pub mod proxy;
pub mod push;
pub mod reconcile;
pub mod remote;
pub mod scan;
pub mod schedule;
pub mod sweep;
pub mod sync;
pub mod text;
pub mod trusted;
pub mod walk;
