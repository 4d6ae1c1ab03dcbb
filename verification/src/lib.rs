//! Verified core of a Gitea workflow-run notifier: request descriptions for the
//! Gitea REST API, the bookkeeping that decides which workflow runs changed
//! state since the last poll, and the text of the notification that reports them.

pub mod text;
pub mod gitea;
pub mod monitor;
