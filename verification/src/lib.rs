//! The verified core of a peer-to-peer file-sharing session.
//!
//! A share is set up in three steps: the files below a path are listed
//! under their names ([`path`], [`import`]), imported into a content store,
//! and put together in a manifest that does not depend on the order in which
//! the imports ended ([`manifest`]). While the share runs, the updates of all
//! requests are gathered into three notifications for the user: a transfer
//! has started, it makes progress, it is complete ([`monitor`], [`epoch`],
//! [`dispatch`], [`notify`]).
//!
//! Nothing here touches the file system or the network. The application
//! asks them and hands the answers over as plain values.

pub mod desktop;
pub mod dispatch;
pub mod epoch;
pub mod import;
pub mod manifest;
pub mod monitor;
pub mod notify;
pub mod path;
pub mod share;
pub mod text;
pub mod vecs;
